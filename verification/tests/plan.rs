use eat::cli::{help_text, prog_name, rewrite_args, short_help, usage_error, wants_help, Cli, ColorMode, ListFormat, ListFormatArg, PagingMode, WrapMode};
use eat::duration::FollowDuration;
use eat::plan::{end_code, end_of, finish_plan, follows_in_a_view, plan, poll_interval, version_line, view_start, End, Plan};

fn strings(v: &[&str]) -> Vec<String> {
    v.iter().map(|s| s.to_string()).collect()
}

fn cli(files: &[&str]) -> Cli {
    Cli {
        language: None,
        plain: false,
        number: false,
        line_range: None,
        color: ColorMode::Auto,
        paging: PagingMode::Auto,
        wrap: WrapMode::Auto,
        follow: None,
        list_languages: None,
        version: false,
        files: strings(files),
    }
}

fn refusal(c: &Cli) -> String {
    match plan("eat", c, true, false) {
        Plan::Refuse(s) => s,
        other => panic!("{other:?}"),
    }
}

#[test]
fn one_file_on_a_terminal_is_shown_in_a_view() {
    assert!(matches!(plan("eat", &cli(&["f"]), true, false), Plan::Snapshot));
    assert!(matches!(plan("eat", &cli(&["f"]), true, true), Plan::Stream(None)));
    assert!(matches!(plan("eat", &cli(&["f"]), false, false), Plan::Stream(None)));
    assert!(matches!(plan("eat", &cli(&["-"]), true, false), Plan::Stream(None)));
    assert!(matches!(plan("eat", &cli(&[]), true, false), Plan::Stream(None)));
    assert!(matches!(plan("eat", &cli(&["a", "b"]), true, false), Plan::Stream(None)));
    let mut c = cli(&["f"]);
    c.plain = true;
    assert!(matches!(plan("eat", &c, true, false), Plan::Stream(None)));
    let mut c = cli(&["f"]);
    c.line_range = Some("2:3".to_string());
    match plan("eat", &c, true, false) {
        Plan::Stream(Some(r)) => assert_eq!((r.start, r.end), (Some(2), Some(3))),
        other => panic!("{other:?}"),
    }
    c.line_range = Some("x".to_string());
    assert_eq!(refusal(&c), "eat: invalid --line-range: invalid line number: invalid digit found in string");
    c.version = true;
    assert!(matches!(plan("eat", &c, true, false), Plan::Version));
    c.list_languages = Some(ListFormatArg(ListFormat::Json));
    assert!(matches!(plan("eat", &c, true, false), Plan::ListLanguages(ListFormat::Json)));
}

#[test]
fn following_is_refused_where_it_would_half_work() {
    let follow = |files: &[&str]| {
        let mut c = cli(files);
        c.follow = Some(FollowDuration(250));
        c
    };
    assert!(matches!(plan("eat", &follow(&["f"]), false, true), Plan::Follow));
    assert_eq!(refusal(&follow(&[])), "eat: --follow requires a file path (stdin is not supported)");
    assert_eq!(refusal(&follow(&["a", "-"])), "eat: --follow requires a file path (stdin is not supported)");
    assert_eq!(refusal(&follow(&["a", "b"])), "eat: --follow takes a single file (multi-file follow is not supported)");
    let mut c = follow(&["a"]);
    c.plain = true;
    assert_eq!(refusal(&c), "eat: --follow cannot be combined with --plain");
    c.line_range = Some("1".to_string());
    assert_eq!(refusal(&c), "eat: --follow cannot be combined with --line-range");
    assert_eq!(poll_interval(Some(FollowDuration(70))), 70);
    assert_eq!(poll_interval(None), 250);
    assert!(follows_in_a_view(true, None) && follows_in_a_view(true, Some("")));
    assert!(!follows_in_a_view(true, Some("0")) && !follows_in_a_view(false, None));
}

fn rewritten(args: &[&str], via: bool, interval: Option<&str>) -> String {
    let mut argv = vec!["eat".to_string()];
    argv.extend(strings(args));
    rewrite_args(&argv, via, interval).join(" ")
}

#[test]
fn bare_options_get_their_values() {
    assert_eq!(rewritten(&[], false, None), "eat");
    assert_eq!(rewritten(&["-L"], false, None), "eat -L pretty");
    assert_eq!(rewritten(&["-L", "json", "x"], false, None), "eat -L json x");
    assert_eq!(rewritten(&["--list-languages", "-n"], false, None), "eat --list-languages pretty -n");
    assert_eq!(rewritten(&["-f", "log"], false, None), "eat -f 250ms log");
    assert_eq!(rewritten(&["-f", "30s", "log"], false, None), "eat -f 30s log");
    assert_eq!(rewritten(&["log", "--follow"], false, Some("70")), "eat log --follow 70ms");
    assert_eq!(rewritten(&["-f", "log"], false, Some("x")), "eat -f 250ms log");
    assert_eq!(rewritten(&["-f", "log"], false, Some("18446744073709551615")), "eat -f 18446744073709551615ms log");
    assert_eq!(rewritten(&["-f", "log"], false, Some("18446744073709551616")), "eat -f 250ms log");
    assert_eq!(rewritten(&["--eat", "a", "--eat"], true, None), "eat a");
    assert_eq!(rewritten(&["--eat", "a"], false, None), "eat --eat a");
    assert_eq!(rewritten(&["-f", "-f", "2"], false, None), "eat -f 250ms -f 2");
}

#[test]
fn help_is_asked_for_anywhere() {
    assert!(wants_help(&strings(&["eat", "x", "--help"])));
    assert!(wants_help(&strings(&["eat", "-h"])));
    assert!(!wants_help(&strings(&["-h", "help"])));
    assert!(!wants_help(&vec![]));
}

#[test]
fn help_names_the_program_as_it_was_called() {
    let help = "Usage: edit [-l <language>]\n\nmore\ntext";
    assert_eq!(help_text(help, false, "edit"), format!("{help}\n"));
    assert_eq!(help_text(help, true, "edit"), "Usage: edit --eat [-l <language>]\n\nmore\ntext\n");
    assert_eq!(help_text(help, true, "other"), format!("{help}\n"));
    assert_eq!(help_text("one line", true, "edit"), "one line\n");
    assert_eq!(usage_error("bad", "edit", true), "bad\nRun edit --eat --help for more information.\n");
    assert_eq!(usage_error("bad", "eat", false), "bad\nRun eat --help for more information.\n");
    assert_eq!(prog_name(Some("bat")), "bat");
    assert_eq!(prog_name(None), "eat");
    assert_eq!(version_line("eat", "1.0"), "eat 1.0\n");
    assert_eq!(
        short_help("edit", true),
        "usage: edit --eat [-l <lang>] [-p] [-n] [-L] [--line-range <RANGE>] [--color <WHEN>] [--paging <WHEN>] [--wrap <WHEN>] [-f [<DUR>]] [--version] [FILES...]\ntry `edit --eat --help` for more details.\n"
    );
}

#[test]
fn an_end_has_its_exit_code() {
    assert_eq!((end_of(true, false), end_of(true, true)), (End::Refused, End::Refused));
    assert_eq!((end_of(false, true), end_of(false, false)), (End::Failed, End::Ended));
    assert_eq!((end_code(End::Refused), end_code(End::Failed), end_code(End::Ended)), (2, 1, 0));
}

#[test]
fn an_unknown_language_refuses_a_view() {
    assert_eq!(view_start("eat", Some("nope"), false).unwrap(), "eat: unknown language 'nope'");
    assert!(view_start("eat", Some("rust"), true).is_none());
    assert!(view_start("eat", None, false).is_none());
    assert!(view_start("eat", None, true).is_none());
}

#[test]
fn a_refusal_and_the_version_end_at_once() {
    let mut c = cli(&["f"]);
    c.line_range = Some(String::new());
    assert_eq!(refusal(&c), "eat: invalid --line-range: empty line range");
    let last = finish_plan(&plan("eat", &c, true, false), "eat", "1.0").unwrap();
    let err = "eat: invalid --line-range: empty line range\n";
    assert_eq!((last.out.as_str(), last.err.as_str(), last.end), ("", err, End::Refused));
    c.version = true;
    let last = finish_plan(&plan("eat", &c, true, false), "eat", "1.0").unwrap();
    assert_eq!((last.out.as_str(), last.err.as_str(), last.end), ("eat 1.0\n", "", End::Ended));
    for other in [Plan::ListLanguages(ListFormat::Json), Plan::Follow, Plan::Snapshot, Plan::Stream(None)] {
        assert!(finish_plan(&other, "eat", "1.0").is_none());
    }
}
