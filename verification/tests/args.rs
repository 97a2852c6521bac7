use eat::args::{refused_name, unknown_option, unknown_quirk, config_was_reset, judge_file, log_failure, print_help, settings, version_line, ArgAction, Args, FileArg, Settings, Verdict};
use eat::cli::ListFormat;
use eat::quirks::{check_quirks_table, known_quirks_for_help, quirks_variable, Quirks};

fn begin(env: Option<&str>) -> (Args, bool, String) {
    let mut out = String::new();
    let (args, go_on) = Args::begin(env, &mut out);
    (args, go_on, out)
}

fn on(args: &Args) -> Vec<&'static str> {
    let mut v: Vec<&'static str> = args.quirks.set.iter().copied().collect();
    v.sort();
    v
}

const KNOWN: &str = "unicode, color (colour), animations, safe-filenames, create (allow-create, allowcreate)";

#[test]
fn the_quirks_have_names_and_spellings() {
    assert_eq!(known_quirks_for_help(), KNOWN);
    assert!(check_quirks_table());
    assert_eq!(quirks_variable(), "EDIT_QUIRKS");
}

#[test]
fn quirks_come_from_the_environment_and_then_from_the_flag() {
    let (args, go_on, out) = begin(None);
    assert!(go_on && out.is_empty());
    assert_eq!(on(&args), ["animations", "color", "safe-filenames", "unicode"]);
    let (mut args, go_on, out) = begin(Some(" -colour, +allow-create ,,"));
    assert!(go_on && out.is_empty());
    assert_eq!(on(&args), ["animations", "create", "safe-filenames", "unicode"]);
    let mut out = String::new();
    assert!(matches!(args.read(1, Some("--quirks=-create,color,-unicode,unicode"), false, &mut out), ArgAction::Next));
    assert_eq!(on(&args), ["animations", "color", "safe-filenames", "unicode"]);
    assert!(matches!(args.read(2, Some("--quirks=create"), false, &mut out), ArgAction::Stop));
    assert_eq!(out, "edit: --quirks may only be passed once\n");
}

#[test]
fn an_unknown_quirk_stops() {
    let (_, go_on, out) = begin(Some("color,nope\n\"x"));
    assert!(!go_on);
    assert_eq!(out, format!("edit: EDIT_QUIRKS contains unknown quirk {:?}\nknown quirks: {KNOWN}\n", "nope\n\"x"));
    let (mut args, _, _) = begin(None);
    let mut out = String::new();
    assert!(matches!(args.read(1, Some("--quirks=-color,--color"), false, &mut out), ArgAction::Stop));
    assert_eq!(out, format!("edit: unknown quirk \"-color\"\nknown quirks: {KNOWN}\n"));
    // What came before stays.
    assert_eq!(on(&args), ["animations", "safe-filenames", "unicode"]);
}

#[test]
fn options_and_a_file() {
    let (mut args, _, _) = begin(None);
    let mut out = String::new();
    assert!(matches!(args.read(1, Some("-"), false, &mut out), ArgAction::Next));
    assert_eq!(args.path, Some(1));
    assert!(matches!(args.read(2, Some("x"), false, &mut out), ArgAction::Stop));
    assert_eq!(out, "edit: only one file argument is supported\n");
    out.clear();
    assert!(matches!(args.read(2, Some("-v"), false, &mut out), ArgAction::Version));
    assert!(matches!(args.read(2, Some("--version"), false, &mut out), ArgAction::Version));
    assert!(matches!(args.read(2, Some("-L"), false, &mut out), ArgAction::List(ListFormat::Pretty)));
    assert!(matches!(args.read(2, Some("--list-languages"), false, &mut out), ArgAction::List(ListFormat::Pretty)));
    assert!(matches!(args.read(2, Some("-L=json"), false, &mut out), ArgAction::List(ListFormat::Json)));
    assert!(matches!(args.read(2, Some("--list-languages=plain"), false, &mut out), ArgAction::List(ListFormat::Plain)));
    assert!(out.is_empty());
    assert!(matches!(args.read(2, Some("-L=xml"), false, &mut out), ArgAction::Stop));
    assert_eq!(out, "edit: invalid list format: xml. expected pretty, plain, or json\n");
    out.clear();
    assert!(matches!(args.read(2, Some("--it's"), false, &mut out), ArgAction::Stop));
    assert_eq!(out, "edit: unknown option \"--it's\"\ntry 'edit --help', or 'edit -- --it's' to open a file with that name\n");
    out.clear();
    assert!(matches!(args.read(2, Some("-h"), false, &mut out), ArgAction::Stop));
    let mut help = String::new();
    print_help(false, &mut help);
    assert_eq!(out, help);
    assert!(help.starts_with("Usage: edit [OPTIONS] [--] FILE[:LINE[:COLUMN]]\nOptions:\n    --eat "));
    assert!(help.ends_with("                   Use --quirks=-NAME to negate an entry from EDIT_QUIRKS.\n"));
    assert_eq!(help.lines().count(), 45);
}

#[test]
fn a_double_dash_ends_the_options() {
    let (mut args, _, _) = begin(None);
    let mut out = String::new();
    assert!(matches!(args.read(1, Some("--"), false, &mut out), ArgAction::Next));
    assert!(matches!(args.read(2, Some("--version"), false, &mut out), ArgAction::Next));
    assert_eq!(args.path, Some(2));
    assert_eq!(args.file_argument(false, &mut out), Some(2));
    assert!(out.is_empty());
    // An argument that is no text is a file.
    let (mut args, _, _) = begin(None);
    assert_eq!(args.file_argument(true, &mut out), None);
    assert!(out.ends_with("    --force-reset-config    Wipe config dir and rewrite defaults, then continue\n"));
    assert!(matches!(args.read(1, None, false, &mut out), ArgAction::Next));
    assert_eq!(args.path, Some(1));
}

#[test]
fn debug_builds_have_more_options() {
    let (mut args, _, _) = begin(None);
    let mut out = String::new();
    assert!(matches!(args.read(1, Some("--logfile=a b"), true, &mut out), ArgAction::OpenLog(p) if p == "a b"));
    assert!(matches!(args.read(1, Some("--force-reset-config"), true, &mut out), ArgAction::ResetConfig));
    assert!(out.is_empty());
    assert!(matches!(args.read(1, Some("--logfile=a"), false, &mut out), ArgAction::Stop));
    assert!(matches!(args.read(1, Some("--force-reset-config"), false, &mut out), ArgAction::Stop));
    assert_eq!(log_failure("no"), "failed to open logfile: no\n");
    out.clear();
    assert!(config_was_reset(None, &mut out));
    assert!(!config_was_reset(Some("Bad"), &mut out));
    assert_eq!(out, "config reset\nfailed to reset config: Bad\n");
    assert_eq!(version_line("1.2.3"), "edit 1.2.3\n");
}

fn quirks(list: &str) -> Quirks {
    let mut q = Quirks::at_start();
    let mut warned = Vec::new();
    q.apply(list, &mut warned).unwrap();
    assert!(warned.is_empty());
    q
}

#[test]
fn quirks_become_settings() {
    let s = settings(&quirks(""), false);
    assert_eq!(s, Settings { ascii_only: false, no_color: false, no_animations: false, allow_create: false });
    let s = settings(&quirks("-unicode,-animations,create"), true);
    assert_eq!(s, Settings { ascii_only: true, no_color: true, no_animations: true, allow_create: true });
    assert!(settings(&quirks("-colour"), false).no_color);
}

#[test]
fn a_file_is_judged() {
    let file = |name: &str, exists: bool| FileArg {
        raw_display: format!("{name}:5"),
        raw_is_dir: false,
        file_display: format!("d/{name}"),
        file_is_dir: false,
        name: Some(name.to_string()),
        exists,
    };
    let judge = |f: &FileArg, list: &str| {
        let mut out = String::new();
        let v = judge_file(f, &quirks(list), &mut out);
        (v, out)
    };
    assert!(matches!(judge(&file("a.rs", true), ""), (Verdict::Open, s) if s.is_empty()));
    assert!(matches!(judge(&file("a.rs", false), "create"), (Verdict::Open, s) if s.is_empty()));
    let (v, out) = judge(&file("a.rs", false), "");
    assert!(matches!(v, Verdict::Refuse));
    assert_eq!(out, "edit: refusing to create new file: d/a.rs\npass `--quirks=create` to allow\n");
    let (v, out) = judge(&file("a\tb", true), "create");
    assert!(matches!(v, Verdict::Refuse));
    assert_eq!(out, "edit: refusing filename \"a\\tb\"\npass `--quirks=-safe-filenames` to allow\n");
    assert!(matches!(judge(&file("a\tb", true), "-safe-filenames"), (Verdict::Open, _)));
    let mut f = file("", true);
    f.name = None;
    let (v, out) = judge(&f, "");
    assert!(matches!(v, Verdict::Refuse));
    assert_eq!(out, "edit: refusing filename \"\"\npass `--quirks=-safe-filenames` to allow\n");
    let mut f = file("x y", true);
    f.file_is_dir = true;
    assert!(matches!(judge(&f, ""), (Verdict::IsADirectory(s), _) if s == "edit: d/x y: Is a directory"));
    f.raw_is_dir = true;
    assert!(matches!(judge(&f, ""), (Verdict::IsADirectory(s), _) if s == "edit: x y:5: Is a directory"));
}

#[test]
fn messages_hold_what_is_shown() {
    assert_eq!(unknown_quirk("start ", "<x>"), format!("start <x>\nknown quirks: {KNOWN}\n"));
    assert_eq!(unknown_option("-x", "<x>"), "edit: unknown option <x>\ntry 'edit --help', or 'edit -- -x' to open a file with that name\n");
    assert_eq!(refused_name("<x>"), "edit: refusing filename <x>\npass `--quirks=-safe-filenames` to allow\n");
}
