//! What eat does with a command line: which of its output paths it takes.
use crate::cli::{line_range_of, parse_line_range, Cli, LineRange, ListFormat, PagingMode};
use crate::duration::FollowDuration;
use crate::stream::unknown_language;
use crate::text::{same_text, text_of, texts};
use vstd::prelude::*;
use vstd::string::StringExecFns;

verus! {

/// What eat does.
#[derive(Debug)]
pub enum Plan {
    /// Lists the known languages.
    ListLanguages(ListFormat),
    /// Prints its name and version.
    Version,
    /// Says why it refuses.
    Refuse(String),
    /// Follows the one file.
    Follow,
    /// Shows the one file in the snapshot view.
    Snapshot,
    /// Writes the inputs through, as far as the range shows them.
    Stream(Option<LineRange>),
}

/// What eat does, as a value of the model.
pub ghost enum Course {
    ListLanguages(ListFormat),
    Version,
    Refuse(Seq<char>),
    Follow,
    Snapshot,
    Stream,
}

/// Why eat refuses to follow, where it does: it follows one file, no standard
/// input, the whole of it, and not as plain text.
pub open spec fn follow_refusal(files: Seq<Seq<char>>, line_range: bool, plain: bool) -> Option<
    Seq<char>,
> {
    if files.len() == 0 || files.contains("-"@) {
        Some("--follow requires a file path (stdin is not supported)"@)
    } else if files.len() > 1 {
        Some("--follow takes a single file (multi-file follow is not supported)"@)
    } else if line_range {
        Some("--follow cannot be combined with --line-range"@)
    } else if plain {
        Some("--follow cannot be combined with --plain"@)
    } else {
        None
    }
}

fn any_stdin(files: &Vec<String>) -> (r: bool)
    ensures
        r == texts(files@).contains("-"@),
{
    for i in 0..files.len()
        invariant
            forall|j: int| 0 <= j < i ==> #[trigger] texts(files@)[j] != "-"@,
    {
        assert(texts(files@)[i as int] == files@[i as int]@);
        if same_text(files[i].as_str(), "-") {
            return true;
        }
    }
    false
}

/// Why eat refuses to follow, where it does.
pub fn refuse_follow(files: &Vec<String>, line_range: bool, plain: bool) -> (r: Option<&'static str>)
    ensures
        text_of(r) == follow_refusal(texts(files@), line_range, plain),
{
    if files.len() == 0 || any_stdin(files) {
        Some("--follow requires a file path (stdin is not supported)")
    } else if files.len() > 1 {
        Some("--follow takes a single file (multi-file follow is not supported)")
    } else if line_range {
        Some("--follow cannot be combined with --line-range")
    } else if plain {
        Some("--follow cannot be combined with --plain")
    } else {
        None
    }
}

/// Whether the snapshot view shows the one file: on a terminal, not plain, the
/// whole of it, and neither standard input nor a directory.
pub open spec fn takes_snapshot(cli: Cli, stdout_is_tty: bool, is_dir: bool) -> bool {
    &&& stdout_is_tty
    &&& !cli.plain
    &&& cli.line_range is None
    &&& cli.files@.len() == 1
    &&& cli.files@[0]@ != "-"@
    &&& !is_dir
}

/// What eat does with a command line; `is_dir` is whether its one file is a
/// directory.
pub open spec fn course(program: Seq<char>, cli: Cli, stdout_is_tty: bool, is_dir: bool) -> Course {
    if let Some(format) = cli.list_languages {
        Course::ListLanguages(format.0)
    } else if cli.version {
        Course::Version
    } else if cli.line_range is Some && line_range_of(cli.line_range->0@) is Err {
        Course::Refuse(
            program + ": invalid --line-range: "@ + line_range_of(cli.line_range->0@)->Err_0,
        )
    } else if cli.follow is Some {
        match follow_refusal(texts(cli.files@), cli.line_range is Some, cli.plain) {
            Some(why) => Course::Refuse(program + ": "@ + why),
            None => Course::Follow,
        }
    } else if takes_snapshot(cli, stdout_is_tty, is_dir) {
        Course::Snapshot
    } else {
        Course::Stream
    }
}

/// Whether a plan is the one of the model.
pub open spec fn follows(plan: Plan, cli: Cli, course: Course) -> bool {
    match (plan, course) {
        (Plan::ListLanguages(a), Course::ListLanguages(b)) => a == b,
        (Plan::Version, Course::Version) => true,
        (Plan::Refuse(s), Course::Refuse(t)) => s@ == t,
        (Plan::Follow, Course::Follow) => true,
        (Plan::Snapshot, Course::Snapshot) => true,
        (Plan::Stream(range), Course::Stream) => match (range, cli.line_range) {
            (Some(r), Some(s)) => line_range_of(s@) == Ok::<_, Seq<char>>(
                (crate::cli::as_nat(r.start), crate::cli::as_nat(r.end)),
            ),
            (None, None) => true,
            _ => false,
        },
        _ => false,
    }
}

/// What eat does with a command line; `program` is its name in messages, and
/// `is_dir` is whether its one file is a directory.
pub fn plan(program: &str, cli: &Cli, stdout_is_tty: bool, is_dir: bool) -> (plan: Plan)
    ensures
        follows(plan, *cli, course(program@, *cli, stdout_is_tty, is_dir)),
{
    if let Some(format) = cli.list_languages {
        return Plan::ListLanguages(format.0);
    }
    if cli.version {
        return Plan::Version;
    }
    let range: Option<LineRange> = match &cli.line_range {
        Some(s) => match parse_line_range(s.as_str()) {
            Ok(r) => Some(r),
            Err(e) => {
                let mut text = program.to_owned();
                text.append(": invalid --line-range: ");
                text.append(e.as_str());
                return Plan::Refuse(text);
            },
        },
        None => None,
    };
    if cli.follow.is_some() {
        return match refuse_follow(&cli.files, range.is_some(), cli.plain) {
            Some(why) => {
                let mut text = program.to_owned();
                text.append(": ");
                text.append(why);
                Plan::Refuse(text)
            },
            None => Plan::Follow,
        };
    }
    if stdout_is_tty && !cli.plain && range.is_none() && cli.files.len() == 1 && !same_text(
        cli.files[0].as_str(),
        "-",
    ) && !is_dir {
        return Plan::Snapshot;
    }
    Plan::Stream(range)
}

/// How often a followed file is polled, in milliseconds.
pub open spec fn interval_for(follow: Option<FollowDuration>) -> u64 {
    match follow {
        Some(d) => d.0,
        None => FollowDuration::DEFAULT,
    }
}

/// Whether a followed file is shown in the follow view.
pub open spec fn in_follow_view(stdout_is_tty: bool, no_tui: Option<Seq<char>>) -> bool {
    stdout_is_tty && !(no_tui matches Some(v) && v.len() > 0)
}

/// How often a followed file is polled, in milliseconds.
pub fn poll_interval(follow: Option<FollowDuration>) -> (ms: u64)
    ensures
        ms == interval_for(follow),
        ms == match follow {
            Some(d) => d.0,
            None => FollowDuration::DEFAULT,
        },
{
    match follow {
        Some(d) => d.0,
        None => FollowDuration::DEFAULT,
    }
}

/// Whether a followed file is shown in the follow view: on a terminal, unless
/// `EAT_FOLLOW_NO_TUI` says otherwise.
pub fn follows_in_a_view(stdout_is_tty: bool, no_tui: Option<&str>) -> (r: bool)
    ensures
        r == in_follow_view(stdout_is_tty, text_of(no_tui)),
        r == (stdout_is_tty && !(no_tui matches Some(v) && v@.len() > 0)),
{
    let forced = match no_tui {
        Some(v) => crate::text::chars_of(v).len() > 0,
        None => false,
    };
    stdout_is_tty && !forced
}

/// What the version option prints.
pub fn version_line(program: &str, version: &str) -> (s: String)
    ensures
        s@ == program@ + " "@ + version@ + "\n"@,
{
    let mut s = program.to_owned();
    s.append(" ");
    s.append(version);
    s.append("\n");
    s
}

/// Why a view refuses a file: its language is named and not known.
pub open spec fn view_refusal(
    program: Seq<char>,
    language: Option<Seq<char>>,
    known_language: bool,
) -> Option<Seq<char>> {
    match language {
        Some(name) => if known_language {
            None
        } else {
            Some(program + ": unknown language '"@ + name + "'"@)
        },
        None => None,
    }
}

/// Why a view, or following, refuses a file, where it does: `known_language` is
/// whether the language that was asked for is one.
pub fn view_start(program: &str, language: Option<&str>, known_language: bool) -> (refusal: Option<
    String,
>)
    ensures
        match refusal {
            Some(s) => view_refusal(program@, text_of(language), known_language) == Some(s@),
            None => view_refusal(program@, text_of(language), known_language) is None,
        },
{
    match language {
        Some(name) => if known_language {
            None
        } else {
            Some(unknown_language(program, name))
        },
        None => None,
    }
}

/// How eat ends.
#[derive(Debug, Clone, Copy, PartialEq, Eq, Structural)]
pub enum End {
    /// It refused what it was asked for.
    Refused,
    /// Reading or writing failed.
    Failed,
    /// All went well.
    Ended,
}

/// How eat ends where it may refuse, and then where it may fail.
pub open spec fn end_for(refused: bool, failed: bool) -> End {
    if refused {
        End::Refused
    } else if failed {
        End::Failed
    } else {
        End::Ended
    }
}

/// How eat ends where it may refuse, and then where it may fail.
pub fn end_of(refused: bool, failed: bool) -> (end: End)
    ensures
        end == end_for(refused, failed),
{
    if refused {
        End::Refused
    } else if failed {
        End::Failed
    } else {
        End::Ended
    }
}

/// The exit code of an end.
pub open spec fn code_of(end: End) -> u8 {
    match end {
        End::Refused => 2,
        End::Failed => 1,
        End::Ended => 0,
    }
}

/// The exit code of an end.
pub fn end_code(end: End) -> (code: u8)
    ensures
        code == code_of(end),
{
    match end {
        End::Refused => 2,
        End::Failed => 1,
        End::Ended => 0,
    }
}

/// What is written last, to standard output and to standard error, and how eat
/// ends.
#[derive(Debug)]
pub struct Finish {
    pub out: String,
    pub err: String,
    pub end: End,
}

/// What is written last, as a value of the model.
pub ghost struct Last {
    pub out: Seq<char>,
    pub err: Seq<char>,
    pub end: End,
}

impl View for Finish {
    type V = Last;

    open spec fn view(&self) -> Last {
        Last { out: self.out@, err: self.err@, end: self.end }
    }
}

/// What is written last, where this is the end.
pub open spec fn finish_view(r: Option<Finish>) -> Option<Last> {
    match r {
        Some(f) => Some(f@),
        None => None,
    }
}

/// What a plan that reads no file writes, and how it ends: the reason for a
/// refusal to standard error, the version to standard output. Listing the
/// languages is not among them.
pub open spec fn plan_finish(plan: Plan, program: Seq<char>, version: Seq<char>) -> Option<Last> {
    match plan {
        Plan::Refuse(text) => Some(
            Last { out: Seq::empty(), err: text@ + "\n"@, end: End::Refused },
        ),
        Plan::Version => Some(
            Last { out: program + " "@ + version + "\n"@, err: Seq::empty(), end: End::Ended },
        ),
        _ => None,
    }
}

/// What a refusal or the version writes, and how it ends; none for the other
/// plans.
pub fn finish_plan(plan: &Plan, program: &str, version: &str) -> (r: Option<Finish>)
    ensures
        finish_view(r) == plan_finish(*plan, program@, version@),
{
    match plan {
        Plan::Refuse(text) => {
            let mut err = text.clone();
            err.append("\n");
            Some(Finish { out: String::new(), err, end: End::Refused })
        },
        Plan::Version => Some(
            Finish { out: version_line(program, version), err: String::new(), end: End::Ended },
        ),
        _ => None,
    }
}

/// A refused command line ends with exit code 2 and the reason on standard
/// error, and the version with 0 and itself on standard output.
pub proof fn the_exit_code_without_reading(
    plan: Plan,
    program: Seq<char>,
    version: Seq<char>,
    cli: Cli,
    stdout_is_tty: bool,
    is_dir: bool,
)
    requires
        follows(plan, cli, course(program, cli, stdout_is_tty, is_dir)),
    ensures
        match course(program, cli, stdout_is_tty, is_dir) {
            Course::Refuse(why) => plan_finish(plan, program, version) matches Some(last)
                && code_of(last.end) == 2 && last.err == why + "\n"@ && last.out.len() == 0,
            Course::Version => plan_finish(plan, program, version) matches Some(last) && code_of(
                last.end,
            ) == 0 && last.err.len() == 0 && last.out == program + " "@ + version + "\n"@,
            _ => plan_finish(plan, program, version) is None,
        },
{
}

/// The language that a command line asks for.
pub open spec fn language_asked(cli: Cli) -> Option<Seq<char>> {
    match cli.language {
        Some(name) => Some(name@),
        None => None,
    }
}

/// The exit code of following: 2 exactly where there is no file or standard
/// input, several files, a line range, plain output, or a language that is not
/// known; otherwise 1 where following failed, and 0 where it ended.
pub proof fn the_exit_code_of_following(
    program: Seq<char>,
    cli: Cli,
    stdout_is_tty: bool,
    is_dir: bool,
    known_language: bool,
    failed: bool,
)
    requires
        cli.follow is Some,
        cli.list_languages is None,
        !cli.version,
    ensures
        ({
            let refused = course(program, cli, stdout_is_tty, is_dir) is Refuse || view_refusal(
                program,
                language_asked(cli),
                known_language,
            ) is Some;
            let files = texts(cli.files@);
            let code = code_of(end_for(refused, failed));
            &&& code == 2 <==> {
                ||| files.len() == 0
                ||| files.contains("-"@)
                ||| files.len() > 1
                ||| cli.line_range is Some
                ||| cli.plain
                ||| cli.language is Some && !known_language
            }
            &&& code != 2 ==> course(program, cli, stdout_is_tty, is_dir) is Follow
            &&& code != 2 ==> code == if failed {
                1int
            } else {
                0int
            }
        }),
{
}

/// Paging changes nothing about which output path is taken.
pub proof fn paging_does_not_change_the_course(
    program: Seq<char>,
    cli: Cli,
    paging: PagingMode,
    stdout_is_tty: bool,
    is_dir: bool,
)
    ensures
        course(program, Cli { paging, ..cli }, stdout_is_tty, is_dir) == course(
            program,
            cli,
            stdout_is_tty,
            is_dir,
        ),
{
}

/// Only files are shown in a view: whatever the command line, standard input
/// and directories are not, nor anything where the output is no terminal.
pub proof fn a_snapshot_is_of_one_file_on_a_terminal(
    program: Seq<char>,
    cli: Cli,
    stdout_is_tty: bool,
    is_dir: bool,
)
    requires
        course(program, cli, stdout_is_tty, is_dir) is Snapshot,
    ensures
        stdout_is_tty,
        !is_dir,
        !cli.plain,
        cli.follow is None,
        texts(cli.files@).len() == 1,
        texts(cli.files@)[0] != "-"@,
{
}

/// Following is of one file alone: with none, several, standard input, a line
/// range or plain output it is refused.
pub proof fn following_is_of_one_whole_file(
    program: Seq<char>,
    cli: Cli,
    stdout_is_tty: bool,
    is_dir: bool,
)
    requires
        course(program, cli, stdout_is_tty, is_dir) is Follow,
    ensures
        texts(cli.files@).len() == 1,
        texts(cli.files@)[0] != "-"@,
        cli.line_range is None,
        !cli.plain,
{
    assert(texts(cli.files@).contains(texts(cli.files@)[0]));
}

/// Listing the languages comes before the version, and the version before all
/// that has to do with files; a line range that cannot be read is refused before
/// any file is.
pub proof fn what_comes_before_the_files(
    program: Seq<char>,
    cli: Cli,
    stdout_is_tty: bool,
    is_dir: bool,
)
    ensures
        ({
            let c = course(program, cli, stdout_is_tty, is_dir);
            &&& cli.list_languages is Some ==> c == Course::ListLanguages((cli.list_languages->0).0)
            &&& cli.list_languages is None && cli.version ==> c == Course::Version
            &&& cli.list_languages is None && !cli.version && cli.line_range is Some
                && line_range_of(cli.line_range->0@) is Err ==> c == Course::Refuse(
                program + ": invalid --line-range: "@ + line_range_of(cli.line_range->0@)->Err_0,
            )
        }),
{
}

/// Which of its output paths eat takes for files: following, where that is asked
/// for, of one file, with no line range and not plain, and otherwise refused; the
/// view, for one file that is no directory, whole, not plain, on a terminal; and
/// writing them through in every other case.
pub proof fn which_output_path_is_taken(
    program: Seq<char>,
    cli: Cli,
    stdout_is_tty: bool,
    is_dir: bool,
)
    requires
        cli.list_languages is None,
        !cli.version,
        cli.line_range is Some ==> line_range_of(cli.line_range->0@) is Ok,
    ensures
        ({
            let c = course(program, cli, stdout_is_tty, is_dir);
            let one_file = cli.files@.len() == 1 && cli.files@[0]@ != "-"@;
            let whole = cli.line_range is None && !cli.plain;
            &&& cli.follow is Some && one_file && whole ==> c is Follow
            &&& cli.follow is Some && !(one_file && whole) ==> c is Refuse
            &&& cli.follow is None && one_file && whole && stdout_is_tty && !is_dir ==> c is Snapshot
            &&& cli.follow is None && !(one_file && whole && stdout_is_tty && !is_dir) ==> c is Stream
        }),
{
    let files = texts(cli.files@);
    if files.len() == 1 {
        assert(files[0] == cli.files@[0]@);
        assert(files.contains(files[0]));
        if files.contains("-"@) {
            let i = choose|i: int| 0 <= i < files.len() && files[i] == "-"@;
            assert(i == 0);
        }
    }
}

/// Why following is refused: no file, or standard input among the files, before
/// all; then several files; then a line range; then plain output.
pub proof fn why_following_is_refused(files: Seq<Seq<char>>, line_range: bool, plain: bool, i: int)
    ensures
        ({
            let why = follow_refusal(files, line_range, plain);
            let stdin = files.len() == 0 || (0 <= i < files.len() && files[i] == "-"@);
            let no_stdin = files.len() > 0 && forall|j: int|
                0 <= j < files.len() ==> #[trigger] files[j] != "-"@;
            &&& stdin ==> why == Some("--follow requires a file path (stdin is not supported)"@)
            &&& no_stdin && files.len() > 1 ==> why == Some(
                "--follow takes a single file (multi-file follow is not supported)"@,
            )
            &&& no_stdin && files.len() == 1 && line_range ==> why == Some(
                "--follow cannot be combined with --line-range"@,
            )
            &&& no_stdin && files.len() == 1 && !line_range && plain ==> why == Some(
                "--follow cannot be combined with --plain"@,
            )
            &&& no_stdin && files.len() == 1 && !line_range && !plain ==> why is None
        }),
{
}

/// A view refuses a file exactly where a language was asked for that is not known,
/// and says which.
pub proof fn when_a_view_refuses(program: Seq<char>, name: Seq<char>, known_language: bool)
    ensures
        view_refusal(program, None, known_language) is None,
        view_refusal(program, Some(name), true) is None,
        view_refusal(program, Some(name), false) == Some(
            program + ": unknown language '"@ + name + "'"@,
        ),
{
}

/// The exit codes: 2 for what is refused, 1 for what failed, 0 for what went well;
/// a refusal comes before a failure.
pub proof fn the_exit_codes(failed: bool)
    ensures
        code_of(end_for(true, failed)) == 2,
        code_of(end_for(false, true)) == 1,
        code_of(end_for(false, false)) == 0,
{
}

/// A file is polled as often as asked for, and else four times a second.
pub proof fn how_often_a_file_is_polled(d: FollowDuration)
    ensures
        interval_for(Some(d)) == d.0,
        interval_for(None) == 250,
{
}

/// A followed file is shown in the view on a terminal, and nowhere else; a
/// variable that is set to anything forbids the view.
pub proof fn where_a_followed_file_is_shown(stdout_is_tty: bool, no_tui: Seq<char>)
    ensures
        in_follow_view(stdout_is_tty, None) == stdout_is_tty,
        no_tui.len() == 0 ==> in_follow_view(stdout_is_tty, Some(no_tui)) == stdout_is_tty,
        no_tui.len() > 0 ==> !in_follow_view(stdout_is_tty, Some(no_tui)),
{
}

/// A plan is the one of the model: it does the same, says the same where it
/// refuses, and shows the range that the command line gives.
pub proof fn a_plan_does_what_its_course_says(plan: Plan, cli: Cli, course: Course)
    requires
        follows(plan, cli, course),
    ensures
        course matches Course::ListLanguages(format) ==> plan == Plan::ListLanguages(format),
        course is Version ==> plan is Version,
        course matches Course::Refuse(why) ==> plan is Refuse && plan->Refuse_0@ == why,
        course is Follow ==> plan is Follow,
        course is Snapshot ==> plan is Snapshot,
        course is Stream ==> plan is Stream,
        course is Stream && cli.line_range is None ==> plan->Stream_0 is None,
        course is Stream && cli.line_range is Some ==> plan->Stream_0 is Some && line_range_of(
            cli.line_range->0@,
        ) == Ok::<(Option<nat>, Option<nat>), Seq<char>>(
            (
                crate::cli::as_nat(plan->Stream_0->0.start),
                crate::cli::as_nat(plan->Stream_0->0.end),
            ),
        ),
{
}

/// What is written last is what is modelled.
pub proof fn what_is_written_last(f: Finish)
    ensures
        finish_view(Some(f)) == Some(Last { out: f.out@, err: f.err@, end: f.end }),
        finish_view(None) is None,
{
}

} // verus!
