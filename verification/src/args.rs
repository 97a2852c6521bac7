//! The editor's command line: its options, its one file, and what it says about
//! them.
//!
//! The arguments are read one after the other; what a step writes is added to
//! the text for standard output. An argument that is not UTF-8 is no option.
use crate::cli::ListFormat;
use crate::filename::{is_safe_filename, safe_filename};
use crate::quirks::{
    known_quirks_for_help,
    names_text,
    pairs,
    quirk_table,
    quirks_applied,
    quirks_variable,
    Quirks,
};
use crate::text::{after_prefix, chars_of, same_text, strip_prefix, text_of};
use vstd::prelude::*;
use vstd::string::StringExecFns;

verus! {

/// The help text.
pub const HELP: &'static str = "Usage: edit [OPTIONS] [--] FILE[:LINE[:COLUMN]]
Options:
    --eat            Act as eat: read stdin if piped, or files from
                     arguments, and page through them.
                     Equivalent to running the eat binary directly.
    -h, --help       Print this help message
    -v, --version    Print the version number
    -L, --list-languages[=FORMAT]
                     Print known syntax-highlighting languages and exit.
                     FORMAT is pretty (default), plain, or json.
                     Use --list-languages=FORMAT or -L=FORMAT to pick.
    --               End of options. Subsequent arguments are treated as
                     file names even if they start with `-`.
                     Example: `edit -- --version` opens a file called `--version`.
    --quirks=LIST    Comma-separated toggles. `NAME` enables, `-NAME` disables.
                     Defaults shown in [brackets]. Known quirks:
                       [on]  unicode        -- render UI with unicode glyphs
                                              (box-drawing etc). disable for
                                              ASCII-only output.
                       [on]  color          -- emit SGR colour. disable to drop
                                              colour while keeping attributes.
                                              alias: colour
                       [on]  animations     -- cursor / scroll / floater motion.
                                              logic stays instant when disabled;
                                              only visible interpolation is
                                              suppressed.
                       [on]  safe-filenames -- refuse weird filenames. names
                                              must be ASCII-only, contain a
                                              letter, not start with `-`, have
                                              at most one leading dot, not be
                                              `.` or `..`; stem is [A-Za-z0-9_+-],
                                              extension(s) alphanumeric only.
                                              disable to permit weird names.
                       [off] create         -- allow creating new files. without
                                              this, edit refuses to open / save a
                                              missing path. edit never creates
                                              directories regardless.
                                              aliases: allow-create, allowcreate

Arguments:
    FILE[:LINE[:COLUMN]]    The file to open, optionally with line and column (e.g., foo.txt:123:45)

Environment:
    EDIT_QUIRKS    Comma-separated quirks applied before any --quirks flag.
                   Use --quirks=-NAME to negate an entry from EDIT_QUIRKS.
";

/// What the help text says more in debug builds.
pub const DEBUG_HELP: &'static str = "
Debug-build options:
    --logfile=PATH          Log inputs + buffer state as JSONL
    --force-reset-config    Wipe config dir and rewrite defaults, then continue
";

/// What `{:?}` makes of a text: the text in double quotes, with escapes.
pub uninterp spec fn quoted(s: Seq<char>) -> Seq<char>;

/// `format!` of the standard library with `{:?}`, on a text. Which characters
/// it escapes is left unsaid.
#[verifier::external_body]
fn quote(s: &str) -> (q: String)
    ensures
        q@ == quoted(s@),
{
    format!("{:?}", s)
}

/// What has been read of the command line.
#[derive(Debug)]
pub struct Args {
    /// Which argument is the file.
    pub path: Option<usize>,
    /// Whether an argument can still be an option.
    pub accept_flags: bool,
    pub quirks: Quirks,
    pub seen_quirks_flag: bool,
}

/// What has been read of the command line, as a value of the model.
pub ghost struct ArgsModel {
    pub path: Option<usize>,
    pub accept_flags: bool,
    pub quirks: Set<Seq<char>>,
    pub seen_quirks_flag: bool,
}

impl View for Args {
    type V = ArgsModel;

    open spec fn view(&self) -> ArgsModel {
        ArgsModel {
            path: self.path,
            accept_flags: self.accept_flags,
            quirks: self.quirks@,
            seen_quirks_flag: self.seen_quirks_flag,
        }
    }
}

/// What to do about an argument.
#[derive(Debug)]
pub enum ArgAction {
    /// Read the next one.
    Next,
    /// Stop, without opening anything.
    Stop,
    /// Print the version, and stop.
    Version,
    /// Print the known languages, and stop.
    List(ListFormat),
    /// Open the log file, and read the next one.
    OpenLog(String),
    /// Reset the configuration, and read the next one where that went well.
    ResetConfig,
}

/// What to do about an argument, as a value of the model.
pub ghost enum Act {
    Next,
    Stop,
    Version,
    List(ListFormat),
    OpenLog(Seq<char>),
    ResetConfig,
}

/// Whether an action is the one of the model.
pub open spec fn acts(action: ArgAction, act: Act) -> bool {
    match (action, act) {
        (ArgAction::Next, Act::Next) => true,
        (ArgAction::Stop, Act::Stop) => true,
        (ArgAction::Version, Act::Version) => true,
        (ArgAction::List(a), Act::List(b)) => a == b,
        (ArgAction::OpenLog(p), Act::OpenLog(q)) => p@ == q,
        (ArgAction::ResetConfig, Act::ResetConfig) => true,
        _ => false,
    }
}

/// What is written about deprecated spellings of quirks.
pub open spec fn warnings_text(warned: Seq<(Seq<char>, Seq<char>)>) -> Seq<char>
    decreases warned.len(),
{
    if warned.len() == 0 {
        Seq::empty()
    } else {
        warnings_text(warned.drop_last()) + "edit: warning: --quirks="@ + warned.last().0
            + " is deprecated, use "@ + warned.last().1 + "\n"@
    }
}

/// What is written about a name that no quirk has; `shown` is the name in
/// quotes.
pub open spec fn unknown_quirk_text(start: Seq<char>, shown: Seq<char>) -> Seq<char> {
    start + shown + "\nknown quirks: "@ + names_text(quirk_table()) + "\n"@
}

/// What is written about a name that no quirk has; `shown` is the name in
/// quotes.
pub fn unknown_quirk(start: &str, shown: &str) -> (s: String)
    ensures
        s@ == unknown_quirk_text(start@, shown@),
{
    let mut s = start.to_owned();
    s.append(shown);
    s.append("\nknown quirks: ");
    s.append(known_quirks_for_help().as_str());
    s.append("\n");
    s
}

/// What is written about an option that is not known; `shown` is the option in
/// quotes.
pub open spec fn unknown_option_text(arg: Seq<char>, shown: Seq<char>) -> Seq<char> {
    "edit: unknown option "@ + shown + "\ntry 'edit --help', or 'edit -- "@ + arg
        + "' to open a file with that name\n"@
}

/// What is written about an option that is not known; `shown` is the option in
/// quotes.
pub fn unknown_option(arg: &str, shown: &str) -> (s: String)
    ensures
        s@ == unknown_option_text(arg@, shown@),
{
    let mut s = "edit: unknown option ".to_owned();
    s.append(shown);
    s.append("\ntry 'edit --help', or 'edit -- ");
    s.append(arg);
    s.append("' to open a file with that name\n");
    s
}

/// What is written about an odd file name; `shown` is the name in quotes.
pub open spec fn refused_name_text(shown: Seq<char>) -> Seq<char> {
    "edit: refusing filename "@ + shown + "\npass `--quirks=-safe-filenames` to allow\n"@
}

/// What is written about an odd file name; `shown` is the name in quotes.
pub fn refused_name(shown: &str) -> (s: String)
    ensures
        s@ == refused_name_text(shown@),
{
    let mut s = "edit: refusing filename ".to_owned();
    s.append(shown);
    s.append("\npass `--quirks=-safe-filenames` to allow\n");
    s
}

/// What came of applying a list of quirks: the quirks that are on, what is
/// written, and whether all names are known.
pub open spec fn quirks_read(start: Seq<char>, list: Seq<char>, quirks: Set<Seq<char>>) -> (
    Set<Seq<char>>,
    Seq<char>,
    bool,
) {
    let a = quirks_applied(list, quirks);
    match a.unknown {
        None => (a.set, warnings_text(a.warned), true),
        Some(name) => (
            a.set,
            warnings_text(a.warned) + unknown_quirk_text(start, quoted(name)),
            false,
        ),
    }
}

/// What a step of reading the command line gives: what has been read, what is
/// written, and what to do.
pub ghost struct ArgStep {
    pub state: ArgsModel,
    pub out: Seq<char>,
    pub act: Act,
}

/// What is done about an argument that is a file.
pub open spec fn file_step(state: ArgsModel, index: usize) -> ArgStep {
    if state.path is Some {
        ArgStep {
            state,
            out: "edit: only one file argument is supported\n"@,
            act: Act::Stop,
        }
    } else {
        ArgStep {
            state: ArgsModel { path: Some(index), ..state },
            out: Seq::empty(),
            act: Act::Next,
        }
    }
}

/// What the help says.
pub open spec fn help_text(debug: bool) -> Seq<char> {
    if debug {
        HELP@ + DEBUG_HELP@
    } else {
        HELP@
    }
}

/// What is done about a list of quirks.
pub open spec fn quirks_step(state: ArgsModel, list: Seq<char>) -> ArgStep {
    if state.seen_quirks_flag {
        ArgStep { state, out: "edit: --quirks may only be passed once\n"@, act: Act::Stop }
    } else {
        let (quirks, out, known) = quirks_read("edit: unknown quirk "@, list, state.quirks);
        ArgStep {
            state: ArgsModel { quirks, seen_quirks_flag: true, ..state },
            out,
            act: if known {
                Act::Next
            } else {
                Act::Stop
            },
        }
    }
}

/// The format that an option asks for, where it lists the languages in one.
pub open spec fn list_value(arg: Seq<char>) -> Option<Seq<char>> {
    match after_prefix(arg, "--list-languages="@) {
        Some(value) => Some(value),
        None => after_prefix(arg, "-L="@),
    }
}

/// What is done about an argument that can be an option.
pub open spec fn option_step(state: ArgsModel, index: usize, arg: Seq<char>, debug: bool) -> ArgStep {
    let keep = |out: Seq<char>, act: Act| ArgStep { state, out, act };
    if arg == "--"@ {
        ArgStep {
            state: ArgsModel { accept_flags: false, ..state },
            out: Seq::empty(),
            act: Act::Next,
        }
    } else if arg == "-h"@ || arg == "--help"@ {
        keep(help_text(debug), Act::Stop)
    } else if arg == "-v"@ || arg == "--version"@ {
        keep(Seq::empty(), Act::Version)
    } else if arg == "-L"@ || arg == "--list-languages"@ {
        keep(Seq::empty(), Act::List(ListFormat::Pretty))
    } else if let Some(value) = list_value(arg) {
        match ListFormat::named(value) {
            Some(format) => keep(Seq::empty(), Act::List(format)),
            None => keep(
                "edit: "@ + ("invalid list format: "@ + value + ". expected pretty, plain, or json"@)
                    + "\n"@,
                Act::Stop,
            ),
        }
    } else if let Some(list) = after_prefix(arg, "--quirks="@) {
        quirks_step(state, list)
    } else if debug && after_prefix(arg, "--logfile="@) is Some {
        keep(Seq::empty(), Act::OpenLog(after_prefix(arg, "--logfile="@)->0))
    } else if debug && arg == "--force-reset-config"@ {
        keep(Seq::empty(), Act::ResetConfig)
    } else if arg.len() > 1 && arg[0] == '-' {
        keep(unknown_option_text(arg, quoted(arg)), Act::Stop)
    } else {
        file_step(state, index)
    }
}

/// What is done about an argument; `arg` is none where it is not UTF-8.
pub open spec fn arg_step(
    state: ArgsModel,
    index: usize,
    arg: Option<Seq<char>>,
    debug: bool,
) -> ArgStep {
    match arg {
        Some(arg) => if state.accept_flags {
            option_step(state, index, arg, debug)
        } else {
            file_step(state, index)
        },
        None => file_step(state, index),
    }
}

fn write_warnings(warned: &Vec<(String, String)>, out: &mut String)
    ensures
        final(out)@ == old(out)@ + warnings_text(pairs(warned@)),
{
    let ghost all = pairs(warned@);
    assert(old(out)@ + Seq::<char>::empty() =~= old(out)@);
    for i in 0..warned.len()
        invariant
            all == pairs(warned@),
            out@ == old(out)@ + warnings_text(all.take(i as int)),
    {
        assert(all.take(i + 1).drop_last() =~= all.take(i as int));
        assert(all[i as int] == (warned@[i as int].0@, warned@[i as int].1@));
        out.append("edit: warning: --quirks=");
        out.append(warned[i].0.as_str());
        out.append(" is deprecated, use ");
        out.append(warned[i].1.as_str());
        out.append("\n");
        assert(out@ =~= old(out)@ + warnings_text(all.take(i + 1)));
    }
    assert(all.take(all.len() as int) =~= all);
}

fn apply_quirks(start: &str, list: &str, quirks: &mut Quirks, out: &mut String) -> (known: bool)
    ensures
        (final(quirks)@, final(out)@, known) == ({
            let (set, text, known) = quirks_read(start@, list@, old(quirks)@);
            (set, old(out)@ + text, known)
        }),
{
    let mut warned: Vec<(String, String)> = Vec::new();
    let ghost before = out@;
    assert(pairs(warned@) =~= Seq::empty());
    match quirks.apply(list, &mut warned) {
        Ok(_) => {
            proof {
                let a = quirks_applied(list@, old(quirks)@);
                assert(Seq::<(Seq<char>, Seq<char>)>::empty() + a.warned =~= a.warned);
            }
            write_warnings(&warned, out);
            true
        },
        Err(name) => {
            proof {
                let a = quirks_applied(list@, old(quirks)@);
                assert(Seq::<(Seq<char>, Seq<char>)>::empty() + a.warned =~= a.warned);
            }
            write_warnings(&warned, out);
            out.append(unknown_quirk(start, quote(name.as_str()).as_str()).as_str());
            proof {
                let a = quirks_applied(list@, old(quirks)@);
                assert(out@ =~= before + (warnings_text(a.warned) + unknown_quirk_text(
                    start@,
                    quoted(name@),
                )));
            }
            false
        },
    }
}

/// Writes the help text; debug builds have more options.
pub fn print_help(debug: bool, out: &mut String)
    ensures
        final(out)@ == old(out)@ + help_text(debug),
{
    out.append(HELP);
    if debug {
        out.append(DEBUG_HELP);
    }
    assert(out@ =~= old(out)@ + help_text(debug));
}

/// The version line.
pub fn version_line(version: &str) -> (s: String)
    ensures
        s@ == "edit "@ + version@ + "\n"@,
{
    let mut s = "edit ".to_owned();
    s.append(version);
    s.append("\n");
    s
}

impl Args {
    /// Nothing has been read but the quirks in the environment, where there are
    /// any; returns whether to go on to the arguments.
    pub fn begin(env_quirks: Option<&str>, out: &mut String) -> (r: (Args, bool))
        ensures
            ({
                let start = Set::<Seq<char>>::empty().insert("unicode"@).insert("color"@).insert(
                    "animations"@,
                ).insert("safe-filenames"@);
                let (quirks, text, known) = match env_quirks {
                    Some(list) => quirks_read(
                        "edit: EDIT_QUIRKS contains unknown quirk "@,
                        list@,
                        start,
                    ),
                    None => (start, Seq::empty(), true),
                };
                &&& r.0@ == (ArgsModel {
                    path: None,
                    accept_flags: true,
                    quirks,
                    seen_quirks_flag: false,
                })
                &&& r.1 == known
                &&& final(out)@ == old(out)@ + text
            }),
    {
        let mut quirks = Quirks::at_start();
        assert(out@ + Seq::<char>::empty() =~= out@);
        let known = match env_quirks {
            Some(list) => {
                let mut start = "edit: ".to_owned();
                start.append(quirks_variable().as_str());
                start.append(" contains unknown quirk ");
                proof {
                    reveal_strlit("edit: ");
                    reveal_strlit("EDIT_QUIRKS");
                    reveal_strlit(" contains unknown quirk ");
                    reveal_strlit("edit: EDIT_QUIRKS contains unknown quirk ");
                    assert(start@ =~= "edit: EDIT_QUIRKS contains unknown quirk "@);
                }
                apply_quirks(start.as_str(), list, &mut quirks, out)
            },
            None => true,
        };
        (Args { path: None, accept_flags: true, quirks, seen_quirks_flag: false }, known)
    }

    /// Reads the argument at `index`, the text of which is `arg`, where it is
    /// UTF-8.
    pub fn read(&mut self, index: usize, arg: Option<&str>, debug: bool, out: &mut String) -> (action:
        ArgAction)
        ensures
            ({
                let step = arg_step(old(self)@, index, text_of(arg), debug);
                &&& final(self)@ == step.state
                &&& final(out)@ == old(out)@ + step.out
                &&& acts(action, step.act)
            }),
    {
        match arg {
            Some(arg) => {
                if self.accept_flags {
                    return self.read_option(index, arg, debug, out);
                }
            },
            None => {},
        }
        self.read_file(index, out)
    }

    /// The file argument, once all arguments have been read; where there is none,
    /// the help is written.
    pub fn file_argument(&self, debug: bool, out: &mut String) -> (index: Option<usize>)
        ensures
            index == self.path,
            final(out)@ == (if self.path is None {
                old(out)@ + help_text(debug)
            } else {
                old(out)@
            }),
    {
        if self.path.is_none() {
            print_help(debug, out);
        }
        self.path
    }

    fn read_file(&mut self, index: usize, out: &mut String) -> (action: ArgAction)
        ensures
            final(self)@ == file_step(old(self)@, index).state,
            final(out)@ == old(out)@ + file_step(old(self)@, index).out,
            acts(action, file_step(old(self)@, index).act),
    {
        if self.path.is_some() {
            out.append("edit: only one file argument is supported\n");
            return ArgAction::Stop;
        }
        assert(out@ + Seq::<char>::empty() =~= out@);
        self.path = Some(index);
        ArgAction::Next
    }

    fn read_option(&mut self, index: usize, arg: &str, debug: bool, out: &mut String) -> (action:
        ArgAction)
        ensures
            ({
                let step = option_step(old(self)@, index, arg@, debug);
                &&& final(self)@ == step.state
                &&& final(out)@ == old(out)@ + step.out
                &&& acts(action, step.act)
            }),
    {
        assert(out@ + Seq::<char>::empty() =~= out@);
        if same_text(arg, "--") {
            self.accept_flags = false;
            return ArgAction::Next;
        }
        if same_text(arg, "-h") || same_text(arg, "--help") {
            print_help(debug, out);
            return ArgAction::Stop;
        }
        if same_text(arg, "-v") || same_text(arg, "--version") {
            return ArgAction::Version;
        }
        if same_text(arg, "-L") || same_text(arg, "--list-languages") {
            return ArgAction::List(ListFormat::Pretty);
        }
        let value = match strip_prefix(arg, "--list-languages=") {
            Some(value) => Some(value),
            None => strip_prefix(arg, "-L="),
        };
        if let Some(value) = value {
            return match ListFormat::parse(value.as_str()) {
                Ok(format) => ArgAction::List(format),
                Err(e) => {
                    out.append("edit: ");
                    out.append(e.as_str());
                    out.append("\n");
                    assert(out@ =~= old(out)@ + ("edit: "@ + e@ + "\n"@));
                    ArgAction::Stop
                },
            };
        }
        if let Some(list) = strip_prefix(arg, "--quirks=") {
            if self.seen_quirks_flag {
                out.append("edit: --quirks may only be passed once\n");
                return ArgAction::Stop;
            }
            self.seen_quirks_flag = true;
            return if apply_quirks("edit: unknown quirk ", list.as_str(), &mut self.quirks, out) {
                ArgAction::Next
            } else {
                ArgAction::Stop
            };
        }
        if debug {
            if let Some(path) = strip_prefix(arg, "--logfile=") {
                return ArgAction::OpenLog(path);
            }
            if same_text(arg, "--force-reset-config") {
                return ArgAction::ResetConfig;
            }
        }
        let chars = chars_of(arg);
        if chars.len() > 1 && chars[0] == '-' {
            out.append(unknown_option(arg, quote(arg).as_str()).as_str());
            return ArgAction::Stop;
        }
        self.read_file(index, out)
    }
}

/// What is written where the log file cannot be opened.
pub fn log_failure(error: &str) -> (s: String)
    ensures
        s@ == "failed to open logfile: "@ + error@ + "\n"@,
{
    let mut s = "failed to open logfile: ".to_owned();
    s.append(error);
    s.append("\n");
    s
}

/// What is done once the configuration was to be reset: `error` is why it was
/// not. Returns whether to read the next argument.
pub fn config_was_reset(error: Option<&str>, out: &mut String) -> (go_on: bool)
    ensures
        go_on == (error is None),
        final(out)@ == old(out)@ + match error {
            Some(e) => "failed to reset config: "@ + e@ + "\n"@,
            None => "config reset\n"@,
        },
{
    match error {
        Some(e) => {
            out.append("failed to reset config: ");
            out.append(e);
            out.append("\n");
            assert(out@ =~= old(out)@ + ("failed to reset config: "@ + e@ + "\n"@));
            false
        },
        None => {
            out.append("config reset\n");
            true
        },
    }
}

/// What the quirks set for the whole editor.
#[derive(Debug, Clone, Copy, PartialEq, Eq, Structural)]
pub struct Settings {
    pub ascii_only: bool,
    pub no_color: bool,
    pub no_animations: bool,
    pub allow_create: bool,
}

/// What the quirks set for the whole editor.
pub open spec fn settings_of(quirks: Set<Seq<char>>, env_no_color: bool) -> Settings {
    Settings {
        ascii_only: !quirks.contains("unicode"@),
        no_color: !quirks.contains("color"@) || env_no_color,
        no_animations: !quirks.contains("animations"@),
        allow_create: quirks.contains("create"@),
    }
}

/// What the quirks set for the whole editor; `env_no_color` is whether the
/// environment turns colors off.
pub fn settings(quirks: &Quirks, env_no_color: bool) -> (s: Settings)
    ensures
        s == settings_of(quirks@, env_no_color),
        s == (Settings {
            ascii_only: !quirks@.contains("unicode"@),
            no_color: !quirks@.contains("color"@) || env_no_color,
            no_animations: !quirks@.contains("animations"@),
            allow_create: quirks@.contains("create"@),
        }),
{
    Settings {
        ascii_only: !quirks.has("unicode"),
        no_color: !quirks.has("color") || env_no_color,
        no_animations: !quirks.has("animations"),
        allow_create: quirks.has("create"),
    }
}

/// The file argument: as it was given, and without a line and column behind it.
#[derive(Debug)]
pub struct FileArg {
    /// How the argument displays, and whether it is a directory.
    pub raw_display: String,
    pub raw_is_dir: bool,
    /// The same of the path without line and column.
    pub file_display: String,
    pub file_is_dir: bool,
    /// The last part of that path, where it is UTF-8.
    pub name: Option<String>,
    /// Whether there is anything at that path.
    pub exists: bool,
}

/// What becomes of the file argument.
#[derive(Debug)]
pub enum Verdict {
    /// It is opened.
    Open,
    /// It is not, and standard output says why.
    Refuse,
    /// It is an error.
    IsADirectory(String),
}

/// The last part of the path, as far as it is a text.
pub open spec fn last_part(file: FileArg) -> Seq<char> {
    match file.name {
        Some(name) => name@,
        None => ""@,
    }
}

/// The directory that the argument names: as it was given first, since a
/// directory named `x:5` is not `x` at line 5.
pub open spec fn directory_named(file: FileArg) -> Option<Seq<char>> {
    if file.raw_is_dir {
        Some(file.raw_display@)
    } else if file.file_is_dir {
        Some(file.file_display@)
    } else {
        None
    }
}

/// What becomes of the file argument, as a value of the model.
pub ghost enum Judged {
    Open,
    /// It is refused, and this is written.
    Refuse(Seq<char>),
    /// It is a directory, and this is the error.
    IsADirectory(Seq<char>),
}

/// What becomes of the file argument.
pub open spec fn judged(file: FileArg, quirks: Set<Seq<char>>) -> Judged {
    match directory_named(file) {
        Some(dir) => Judged::IsADirectory("edit: "@ + dir + ": Is a directory"@),
        None => if quirks.contains("safe-filenames"@) && !safe_filename(last_part(file)) {
            Judged::Refuse(refused_name_text(quoted(last_part(file))))
        } else if !quirks.contains("create"@) && !file.exists {
            Judged::Refuse(
                "edit: refusing to create new file: "@ + file.file_display@
                    + "\npass `--quirks=create` to allow\n"@,
            )
        } else {
            Judged::Open
        },
    }
}

/// What becomes of the file argument: a directory is an error, an odd name is
/// refused unless that is allowed, and so is a new file.
pub fn judge_file(file: &FileArg, quirks: &Quirks, out: &mut String) -> (verdict: Verdict)
    ensures
        match directory_named(*file) {
            Some(dir) => verdict matches Verdict::IsADirectory(text) && text@ == "edit: "@ + dir
                + ": Is a directory"@ && final(out)@ == old(out)@,
            None => if quirks@.contains("safe-filenames"@) && !safe_filename(last_part(*file)) {
                verdict is Refuse && final(out)@ == old(out)@ + refused_name_text(
                    quoted(last_part(*file)),
                )
            } else if !quirks@.contains("create"@) && !file.exists {
                verdict is Refuse && final(out)@ == old(out)@ + (
                "edit: refusing to create new file: "@ + file.file_display@
                    + "\npass `--quirks=create` to allow\n"@)
            } else {
                verdict is Open && final(out)@ == old(out)@
            },
        },
        match judged(*file, quirks@) {
            Judged::Open => verdict is Open && final(out)@ == old(out)@,
            Judged::Refuse(text) => verdict is Refuse && final(out)@ == old(out)@ + text,
            Judged::IsADirectory(text) => verdict matches Verdict::IsADirectory(t) && t@ == text
                && final(out)@ == old(out)@,
        },
{
    if file.raw_is_dir || file.file_is_dir {
        let mut text = "edit: ".to_owned();
        text.append(
            if file.raw_is_dir {
                file.raw_display.as_str()
            } else {
                file.file_display.as_str()
            },
        );
        text.append(": Is a directory");
        return Verdict::IsADirectory(text);
    }
    let name = match &file.name {
        Some(name) => name.as_str(),
        None => "",
    };
    if quirks.has("safe-filenames") && !is_safe_filename(name) {
        out.append(refused_name(quote(name).as_str()).as_str());
        return Verdict::Refuse;
    }
    if !quirks.has("create") && !file.exists {
        out.append("edit: refusing to create new file: ");
        out.append(file.file_display.as_str());
        out.append("\npass `--quirks=create` to allow\n");
        assert(out@ =~= old(out)@ + ("edit: refusing to create new file: "@ + file.file_display@
            + "\npass `--quirks=create` to allow\n"@));
        return Verdict::Refuse;
    }
    Verdict::Open
}

/// After `--` every argument is a file, even one that starts with a hyphen.
pub proof fn after_a_double_dash_everything_is_a_file(
    state: ArgsModel,
    index: usize,
    arg: Option<Seq<char>>,
    debug: bool,
)
    requires
        state.path is None,
        state.accept_flags,
    ensures
        ({
            let dashes = arg_step(state, index, Some("--"@), debug).state;
            arg_step(dashes, index, arg, debug) == ArgStep {
                state: ArgsModel { path: Some(index), ..dashes },
                out: Seq::empty(),
                act: Act::Next,
            }
        }),
{
}

/// At most one argument is a file: once there is one it stays, and another
/// argument that is no option stops the editor.
pub proof fn at_most_one_argument_is_a_file(
    state: ArgsModel,
    index: usize,
    arg: Option<Seq<char>>,
    debug: bool,
)
    requires
        state.path is Some,
    ensures
        arg_step(state, index, arg, debug).state.path == state.path,
        !state.accept_flags || arg is None || arg->0.len() == 0 || arg->0[0] != '-' ==> arg_step(
            state,
            index,
            arg,
            debug,
        ).act is Stop,
{
    reveal_strlit("--");
    reveal_strlit("-h");
    reveal_strlit("--help");
    reveal_strlit("-v");
    reveal_strlit("--version");
    reveal_strlit("-L");
    reveal_strlit("--list-languages");
    reveal_strlit("--list-languages=");
    reveal_strlit("-L=");
    reveal_strlit("--quirks=");
    reveal_strlit("--logfile=");
    reveal_strlit("--force-reset-config");
    if let Some(a) = arg {
        if a.len() == 0 || a[0] != '-' {
            lemma_not_a_prefix(a, "--list-languages="@);
            lemma_not_a_prefix(a, "-L="@);
            lemma_not_a_prefix(a, "--quirks="@);
            lemma_not_a_prefix(a, "--logfile="@);
        }
    }
}

/// The quirks are passed once: a second list is not applied, and stops the
/// editor.
pub proof fn quirks_are_passed_once(
    state: ArgsModel,
    index: usize,
    list: Seq<char>,
    debug: bool,
)
    requires
        state.accept_flags,
        state.seen_quirks_flag,
    ensures
        arg_step(state, index, Some("--quirks="@ + list), debug) == (ArgStep {
            state,
            out: "edit: --quirks may only be passed once\n"@,
            act: Act::Stop,
        }),
{
    let arg = "--quirks="@ + list;
    reveal_strlit("--quirks=");
    reveal_strlit("--");
    reveal_strlit("-h");
    reveal_strlit("--help");
    reveal_strlit("-v");
    reveal_strlit("--version");
    reveal_strlit("-L");
    reveal_strlit("--list-languages");
    reveal_strlit("--list-languages=");
    reveal_strlit("-L=");
    assert(arg[1] == '-' && arg[2] == 'q');
    assert("--help"@[2] == 'h' && "--version"@[2] == 'v' && "--list-languages"@[2] == 'l');
    if after_prefix(arg, "--list-languages="@) is Some {
        assert(arg.take(17)[2] == arg[2]);
    }
    if after_prefix(arg, "-L="@) is Some {
        assert(arg.take(3)[1] == arg[1]);
    }
    assert(arg.take("--quirks="@.len() as int) =~= "--quirks="@);
}

proof fn lemma_not_a_prefix(s: Seq<char>, p: Seq<char>)
    requires
        p.len() > 0,
        s.len() == 0 || s[0] != p[0],
    ensures
        after_prefix(s, p) is None,
{
    if p.len() <= s.len() {
        assert(s.take(p.len() as int)[0] == s[0]);
    }
}

/// What an argument is that is no option: with no file so far it is the file, at
/// its place, and reading goes on.
pub proof fn an_argument_that_is_no_option_is_the_file(
    state: ArgsModel,
    index: usize,
    arg: Seq<char>,
    debug: bool,
)
    requires
        state.path is None,
        state.accept_flags,
        arg.len() < 2 || arg[0] != '-',
    ensures
        arg_step(state, index, Some(arg), debug) == (ArgStep {
            state: ArgsModel { path: Some(index), ..state },
            out: Seq::empty(),
            act: Act::Next,
        }),
        arg_step(state, index, None, debug) == (ArgStep {
            state: ArgsModel { path: Some(index), ..state },
            out: Seq::empty(),
            act: Act::Next,
        }),
{
    reveal_strlit("--");
    reveal_strlit("-h");
    reveal_strlit("--help");
    reveal_strlit("-v");
    reveal_strlit("--version");
    reveal_strlit("-L");
    reveal_strlit("--list-languages");
    reveal_strlit("--list-languages=");
    reveal_strlit("-L=");
    reveal_strlit("--quirks=");
    reveal_strlit("--logfile=");
    reveal_strlit("--force-reset-config");
    if arg.len() == 0 || arg[0] != '-' {
        lemma_not_a_prefix(arg, "--list-languages="@);
        lemma_not_a_prefix(arg, "-L="@);
        lemma_not_a_prefix(arg, "--quirks="@);
        lemma_not_a_prefix(arg, "--logfile="@);
    }
}

/// What the options without a value do: `--` ends them, help and the version are
/// printed, and the languages are listed as they are by default; nothing but `--`
/// changes what has been read.
pub proof fn what_the_plain_options_do(state: ArgsModel, index: usize, debug: bool)
    requires
        state.accept_flags,
    ensures
        arg_step(state, index, Some("--"@), debug) == (ArgStep {
            state: ArgsModel { accept_flags: false, ..state },
            out: Seq::empty(),
            act: Act::Next,
        }),
        arg_step(state, index, Some("-h"@), debug) == (ArgStep {
            state,
            out: help_text(debug),
            act: Act::Stop,
        }),
        arg_step(state, index, Some("--help"@), debug) == arg_step(
            state,
            index,
            Some("-h"@),
            debug,
        ),
        arg_step(state, index, Some("-v"@), debug) == (ArgStep {
            state,
            out: Seq::empty(),
            act: Act::Version,
        }),
        arg_step(state, index, Some("--version"@), debug) == arg_step(
            state,
            index,
            Some("-v"@),
            debug,
        ),
        arg_step(state, index, Some("-L"@), debug) == (ArgStep {
            state,
            out: Seq::empty(),
            act: Act::List(ListFormat::Pretty),
        }),
        arg_step(state, index, Some("--list-languages"@), debug) == arg_step(
            state,
            index,
            Some("-L"@),
            debug,
        ),
{
    reveal_strlit("--");
    reveal_strlit("-h");
    reveal_strlit("--help");
    reveal_strlit("-v");
    reveal_strlit("--version");
    reveal_strlit("-L");
    reveal_strlit("--list-languages");
    assert("-h"@[1] == 'h' && "-v"@[1] == 'v' && "-L"@[1] == 'L' && "--"@[1] == '-');
    assert("--help"@.len() == 6 && "--version"@.len() == 9 && "--list-languages"@.len() == 16);
}

/// A list format behind either form of the list option is the one that is listed;
/// any other value stops, and says so.
pub proof fn the_list_option_takes_its_format(
    state: ArgsModel,
    index: usize,
    value: Seq<char>,
    debug: bool,
)
    requires
        state.accept_flags,
    ensures
        ({
            let step = arg_step(state, index, Some("--list-languages="@ + value), debug);
            let short = arg_step(state, index, Some("-L="@ + value), debug);
            &&& step == short
            &&& step.state == state
            &&& ListFormat::named(value) matches Some(format) ==> step.act == Act::List(format)
                && step.out.len() == 0
            &&& ListFormat::named(value) is None ==> step.act == Act::Stop && step.out == "edit: "@
                + ("invalid list format: "@ + value + ". expected pretty, plain, or json"@)
                + "\n"@
        }),
{
    reveal_strlit("--");
    reveal_strlit("-h");
    reveal_strlit("--help");
    reveal_strlit("-v");
    reveal_strlit("--version");
    reveal_strlit("-L");
    reveal_strlit("--list-languages");
    reveal_strlit("--list-languages=");
    reveal_strlit("-L=");
    let long = "--list-languages="@ + value;
    let short = "-L="@ + value;
    crate::text::a_text_is_its_prefix_and_what_follows(long, "--list-languages="@, value);
    crate::text::a_text_is_its_prefix_and_what_follows(short, "-L="@, value);
    assert(long[2] == 'l' && short[1] == 'L' && short[2] == '=');
    assert("--help"@[2] == 'h' && "--version"@[2] == 'v');
    assert(long[16] == '=');
    assert("-L"@.len() == 2 && "--list-languages"@.len() == 16);
    if after_prefix(short, "--list-languages="@) is Some {
        assert(short.take(17)[1] == short[1]);
    }
}

/// Only what is known is an option: any other argument of a hyphen and more stops,
/// with what has been read unchanged.
pub proof fn an_unknown_option_stops(
    state: ArgsModel,
    index: usize,
    arg: Seq<char>,
    debug: bool,
)
    requires
        state.accept_flags,
        arg.len() >= 2,
        arg[0] == '-',
        arg != "--"@,
        arg != "-h"@ && arg != "--help"@ && arg != "-v"@ && arg != "--version"@,
        arg != "-L"@ && arg != "--list-languages"@,
        !"--list-languages="@.is_prefix_of(arg) && !"-L="@.is_prefix_of(arg),
        !"--quirks="@.is_prefix_of(arg),
        debug ==> !"--logfile="@.is_prefix_of(arg) && arg != "--force-reset-config"@,
    ensures
        ({
            let step = arg_step(state, index, Some(arg), debug);
            &&& step.act == Act::Stop
            &&& step.state == state
            &&& step.out == "edit: unknown option "@ + quoted(arg)
                + "\ntry 'edit --help', or 'edit -- "@ + arg
                + "' to open a file with that name\n"@
        }),
{
    crate::text::a_text_is_its_prefix_and_what_follows(arg, "--list-languages="@, arg);
    crate::text::a_text_is_its_prefix_and_what_follows(arg, "-L="@, arg);
    crate::text::a_text_is_its_prefix_and_what_follows(arg, "--quirks="@, arg);
    crate::text::a_text_is_its_prefix_and_what_follows(arg, "--logfile="@, arg);
}

/// A first list of quirks is applied to those that are on: where it names only
/// quirks, reading goes on, and where it does not, it stops; a second list is
/// refused from then on. Nothing else of what has been read changes.
pub proof fn a_first_list_of_quirks_is_applied(
    state: ArgsModel,
    index: usize,
    list: Seq<char>,
    debug: bool,
)
    requires
        state.accept_flags,
        !state.seen_quirks_flag,
    ensures
        ({
            let step = arg_step(state, index, Some("--quirks="@ + list), debug);
            let a = quirks_applied(list, state.quirks);
            &&& step.state == (ArgsModel { quirks: a.set, seen_quirks_flag: true, ..state })
            &&& a.unknown is None ==> step.act == Act::Next && step.out == warnings_text(a.warned)
            &&& a.unknown is Some ==> step.act == Act::Stop
        }),
{
    let arg = "--quirks="@ + list;
    reveal_strlit("--quirks=");
    reveal_strlit("--");
    reveal_strlit("-h");
    reveal_strlit("--help");
    reveal_strlit("-v");
    reveal_strlit("--version");
    reveal_strlit("-L");
    reveal_strlit("--list-languages");
    reveal_strlit("--list-languages=");
    reveal_strlit("-L=");
    assert(arg[1] == '-' && arg[2] == 'q');
    assert("--help"@[2] == 'h' && "--version"@[2] == 'v' && "--list-languages"@[2] == 'l');
    if after_prefix(arg, "--list-languages="@) is Some {
        assert(arg.take(17)[2] == arg[2]);
    }
    if after_prefix(arg, "-L="@) is Some {
        assert(arg.take(3)[1] == arg[1]);
    }
    crate::text::a_text_is_its_prefix_and_what_follows(arg, "--quirks="@, list);
}

/// A directory is named by the argument as it was given, and only then by the
/// path without a line behind it.
pub proof fn which_directory_is_named(file: FileArg)
    ensures
        file.raw_is_dir ==> directory_named(file) == Some(file.raw_display@),
        !file.raw_is_dir && file.file_is_dir ==> directory_named(file) == Some(file.file_display@),
        !file.raw_is_dir && !file.file_is_dir ==> directory_named(file) is None,
{
}

/// A file is opened exactly where it is no directory, its name is safe or that
/// does not matter, and it is there or may be made; the reasons not to come in
/// that order.
pub proof fn which_file_is_opened(file: FileArg, quirks: Set<Seq<char>>)
    ensures
        ({
            let dir = file.raw_is_dir || file.file_is_dir;
            let name = match file.name {
                Some(name) => name@,
                None => Seq::empty(),
            };
            let odd = quirks.contains("safe-filenames"@) && !safe_filename(name);
            let missing = !quirks.contains("create"@) && !file.exists;
            let j = judged(file, quirks);
            &&& j is IsADirectory <==> dir
            &&& j is Open <==> !dir && !odd && !missing
            &&& !dir && odd ==> j == Judged::Refuse(
                "edit: refusing filename "@ + quoted(name)
                    + "\npass `--quirks=-safe-filenames` to allow\n"@,
            )
            &&& !dir && !odd && missing ==> j == Judged::Refuse(
                "edit: refusing to create new file: "@ + file.file_display@
                    + "\npass `--quirks=create` to allow\n"@,
            )
            &&& file.raw_is_dir ==> j == Judged::IsADirectory(
                "edit: "@ + file.raw_display@ + ": Is a directory"@,
            )
            &&& !file.raw_is_dir && file.file_is_dir ==> j == Judged::IsADirectory(
                "edit: "@ + file.file_display@ + ": Is a directory"@,
            )
        }),
{
    reveal_strlit("");
    assert(""@ =~= Seq::<char>::empty());
}

/// What each quirk is for: without the one for Unicode only ASCII is drawn,
/// without the ones for color and animations there are none of those, the
/// environment too can turn colors off, and new files are made where that is on.
pub proof fn what_each_quirk_is_for(quirks: Set<Seq<char>>, env_no_color: bool)
    ensures
        ({
            let s = settings_of(quirks, env_no_color);
            &&& s.ascii_only <==> !quirks.contains("unicode"@)
            &&& s.no_color <==> env_no_color || !quirks.contains("color"@)
            &&& s.no_animations <==> !quirks.contains("animations"@)
            &&& s.allow_create <==> quirks.contains("create"@)
        }),
{
}

/// An action is the one of the model.
pub proof fn an_action_is_the_one_taken(action: ArgAction, act: Act)
    requires
        acts(action, act),
    ensures
        act is Next ==> action is Next,
        act is Stop ==> action is Stop,
        act is Version ==> action is Version,
        act matches Act::List(format) ==> action == ArgAction::List(format),
        act matches Act::OpenLog(path) ==> action is OpenLog && action->OpenLog_0@ == path,
        act is ResetConfig ==> action is ResetConfig,
{
}

/// The options for debugging are options in debug builds only.
pub proof fn the_options_for_debugging(
    state: ArgsModel,
    index: usize,
    path: Seq<char>,
)
    requires
        state.accept_flags,
    ensures
        arg_step(state, index, Some("--logfile="@ + path), true) == (ArgStep {
            state,
            out: Seq::empty(),
            act: Act::OpenLog(path),
        }),
        arg_step(state, index, Some("--force-reset-config"@), true) == (ArgStep {
            state,
            out: Seq::empty(),
            act: Act::ResetConfig,
        }),
        arg_step(state, index, Some("--logfile="@ + path), false).act is Stop,
        arg_step(state, index, Some("--force-reset-config"@), false).act is Stop,
{
    let log = "--logfile="@ + path;
    let reset = "--force-reset-config"@;
    reveal_strlit("--logfile=");
    reveal_strlit("--force-reset-config");
    reveal_strlit("--quirks=");
    reveal_strlit("--");
    reveal_strlit("-h");
    reveal_strlit("--help");
    reveal_strlit("-v");
    reveal_strlit("--version");
    reveal_strlit("-L");
    reveal_strlit("--list-languages");
    reveal_strlit("--list-languages=");
    reveal_strlit("-L=");
    assert(log[1] == '-' && log[2] == 'l' && log[3] == 'o');
    assert(reset[1] == '-' && reset[2] == 'f');
    assert("--help"@[2] == 'h' && "--version"@[2] == 'v');
    assert("--list-languages"@[3] == 'i');
    crate::text::a_text_is_its_prefix_and_what_follows(log, "--logfile="@, path);
    lemma_no_prefix_at(log, "--list-languages="@, 3);
    lemma_no_prefix_at(log, "-L="@, 1);
    lemma_no_prefix_at(log, "--quirks="@, 2);
    lemma_no_prefix_at(reset, "--list-languages="@, 2);
    lemma_no_prefix_at(reset, "-L="@, 1);
    lemma_no_prefix_at(reset, "--quirks="@, 2);
    lemma_no_prefix_at(reset, "--logfile="@, 2);
}

proof fn lemma_no_prefix_at(s: Seq<char>, p: Seq<char>, i: int)
    requires
        0 <= i < p.len(),
        i < s.len(),
        s[i] != p[i],
    ensures
        after_prefix(s, p) is None,
{
    if p.len() <= s.len() {
        assert(s.take(p.len() as int)[i] == s[i]);
    }
}

/// A list with a name that no quirk has is told apart: what was deprecated is
/// warned of, then the name is told in quotes, and then the names that there are.
pub proof fn an_unknown_quirk_is_told(start: Seq<char>, list: Seq<char>, quirks: Set<Seq<char>>)
    ensures
        ({
            let a = quirks_applied(list, quirks);
            let (set, out, known) = quirks_read(start, list, quirks);
            &&& set == a.set
            &&& known <==> a.unknown is None
            &&& known ==> out == warnings_text(a.warned)
            &&& !known ==> out == warnings_text(a.warned) + (start + quoted(a.unknown->0)
                + "\nknown quirks: "@ + names_text(quirk_table()) + "\n"@)
        }),
{
}

} // verus!
